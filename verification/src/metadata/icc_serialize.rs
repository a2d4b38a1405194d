//! Serialization of matrix/TRC ICC profiles through `gamut-icc`.

use crate::bytes::be_u32_at;
use gamut_icc::{
    Curve, IccError as GamutIccError, IccProfile as GamutProfile, ProfileHeader, ProfileVersion, S15Fixed16,
    Signature, TagData, TextDescription, U8Fixed8, XyzNumber,
};
use vstd::prelude::*;

verus! {

/// A text tag: its signature and its ASCII text.
pub struct IccText {
    pub sig: [u8; 4],
    pub text: String,
}

/// An XYZ tag holding one `s15Fixed16` tristimulus value.
#[derive(Clone, Copy, PartialEq, Eq)]
pub struct IccXyz {
    pub sig: [u8; 4],
    pub x: i32,
    pub y: i32,
    pub z: i32,
}

/// A tone-curve tag holding a single `u8Fixed8` gamma.
#[derive(Clone, Copy, PartialEq, Eq)]
pub struct IccGamma {
    pub sig: [u8; 4],
    pub gamma: u16,
}

/// A matrix/TRC profile: header fields, a `textDescription` tag, a `text`
/// tag, XYZ tags and gamma curve tags, serialized in that tag order.
pub struct MatrixTrcProfile {
    /// Device class signature (e.g. `mntr`).
    pub class: [u8; 4],
    /// Data colour space signature (e.g. `RGB `).
    pub space: [u8; 4],
    /// Major, minor and bug-fix version.
    pub version: [u8; 3],
    pub desc: IccText,
    pub cprt: IccText,
    pub xyz: Vec<IccXyz>,
    pub trc: Vec<IccGamma>,
}

/// The plain content of a `MatrixTrcProfile`.
pub struct MatrixTrcView {
    pub class: Seq<u8>,
    pub space: Seq<u8>,
    pub version: Seq<u8>,
    pub desc_sig: Seq<u8>,
    pub desc: Seq<char>,
    pub cprt_sig: Seq<u8>,
    pub cprt: Seq<char>,
    pub xyz: Seq<IccXyz>,
    pub trc: Seq<IccGamma>,
}

impl View for MatrixTrcProfile {
    type V = MatrixTrcView;

    open spec fn view(&self) -> MatrixTrcView {
        MatrixTrcView {
            class: self.class@,
            space: self.space@,
            version: self.version@,
            desc_sig: self.desc.sig@,
            desc: self.desc.text@,
            cprt_sig: self.cprt.sig@,
            cprt: self.cprt.text@,
            xyz: self.xyz@,
            trc: self.trc@,
        }
    }
}

/// One tag of a profile held by `gamut-icc`: its signature and its content.
pub enum IccTagView {
    /// A `textDescriptionType` element with the given ASCII form (no Unicode
    /// or ScriptCode form).
    TextDescription(Seq<u8>, Seq<char>),
    /// A `textType` element.
    Text(Seq<u8>, Seq<char>),
    /// An `XYZType` element with one `s15Fixed16` XYZ number.
    Xyz(Seq<u8>, i32, i32, i32),
    /// A `curveType` element holding a single `u8Fixed8` gamma.
    Gamma(Seq<u8>, u16),
}

/// The header fields a profile is built with.
pub struct IccHeaderView {
    pub class: Seq<u8>,
    pub space: Seq<u8>,
    /// Major, minor and bug-fix version.
    pub version: Seq<u8>,
}

/// A header view from its fields.
pub open spec fn header_view(class: Seq<u8>, space: Seq<u8>, version: Seq<u8>) -> IccHeaderView {
    IccHeaderView { class, space, version }
}

/// The signature of a tag.
pub open spec fn tag_sig(t: IccTagView) -> Seq<u8> {
    match t {
        IccTagView::TextDescription(sig, _) => sig,
        IccTagView::Text(sig, _) => sig,
        IccTagView::Xyz(sig, _, _, _) => sig,
        IccTagView::Gamma(sig, _) => sig,
    }
}

/// Text that ICC ASCII elements accept: 7-bit, without NUL.
pub open spec fn is_icc_ascii(t: Seq<char>) -> bool {
    forall|i: int| 0 <= i < t.len() ==> 0 < (#[trigger] t[i] as u32) < 128
}

/// Whether a tag's text, if it has any, is text ICC ASCII elements accept.
pub open spec fn tag_text_ok(t: IccTagView) -> bool {
    match t {
        IccTagView::TextDescription(_, s) => is_icc_ascii(s),
        IccTagView::Text(_, s) => is_icc_ascii(s),
        _ => true,
    }
}

/// What the `gamut-icc` writer accepts of a tag list: distinct signatures and
/// NUL-free ASCII text.
pub open spec fn tags_serializable(tags: Seq<IccTagView>) -> bool {
    &&& forall|i: int, j: int|
        0 <= i < j < tags.len() ==> tag_sig(#[trigger] tags[i]) != tag_sig(#[trigger] tags[j])
    &&& forall|i: int| 0 <= i < tags.len() ==> tag_text_ok(#[trigger] tags[i])
}

/// The seven device classes of ICC.1:2022 §7.2.5.
pub open spec fn is_known_class(c: Seq<u8>) -> bool {
    c == seq![0x73u8, 0x63, 0x6e, 0x72] || c == seq![0x6du8, 0x6e, 0x74, 0x72] || c == seq![
        0x70u8,
        0x72,
        0x74,
        0x72,
    ] || c == seq![0x6cu8, 0x69, 0x6e, 0x6b] || c == seq![0x73u8, 0x70, 0x61, 0x63] || c == seq![
        0x61u8,
        0x62,
        0x73,
        0x74,
    ] || c == seq![0x6eu8, 0x6d, 0x63, 0x6c]
}

/// The colour spaces of ICC.1:2022 §7.2.6: the eleven named ones and `nCLR`
/// for 2 to 15 colorants.
pub open spec fn is_known_space(c: Seq<u8>) -> bool {
    ||| c == seq![0x58u8, 0x59, 0x5a, 0x20]
    ||| c == seq![0x4cu8, 0x61, 0x62, 0x20]
    ||| c == seq![0x4cu8, 0x75, 0x76, 0x20]
    ||| c == seq![0x59u8, 0x43, 0x62, 0x72]
    ||| c == seq![0x59u8, 0x78, 0x79, 0x20]
    ||| c == seq![0x52u8, 0x47, 0x42, 0x20]
    ||| c == seq![0x47u8, 0x52, 0x41, 0x59]
    ||| c == seq![0x48u8, 0x53, 0x56, 0x20]
    ||| c == seq![0x48u8, 0x4c, 0x53, 0x20]
    ||| c == seq![0x43u8, 0x4d, 0x59, 0x4b]
    ||| c == seq![0x43u8, 0x4d, 0x59, 0x20]
    ||| (c.len() == 4 && c[1] == 0x43 && c[2] == 0x4c && c[3] == 0x52 && ((0x32 <= c[0] <= 0x39)
        || (0x41 <= c[0] <= 0x46)))
}

/// The header and tag table of a serialized profile: the size field, the
/// version, class, colour space, `XYZ ` connection space, `acsp` magic, the tag
/// count and each tag's signature in order.
pub open spec fn icc_layout(b: Seq<u8>, h: IccHeaderView, tags: Seq<IccTagView>) -> bool {
    let n = tags.len();
    &&& b.len() >= 132 + 12 * n
    &&& be_u32_at(b, 0) == b.len() % 0x1_0000_0000
    &&& b[8] == h.version[0]
    &&& b[9] == (h.version[1] % 16) * 16 + h.version[2] % 16
    &&& b[10] == 0 && b[11] == 0
    &&& b.subrange(12, 16) == h.class
    &&& b.subrange(16, 20) == h.space
    &&& b.subrange(20, 24) == seq![0x58u8, 0x59, 0x5a, 0x20]
    &&& b.subrange(36, 40) == seq![0x61u8, 0x63, 0x73, 0x70]
    &&& be_u32_at(b, 128) == n % 0x1_0000_0000
    &&& forall|k: int|
        0 <= k < n ==> b.subrange(132 + 12 * k, 136 + 12 * k) == tag_sig(#[trigger] tags[k])
}

/// The length of the element `gamut-icc` writes for a tag: an 8-byte type
/// header, then for `textDescriptionType` the counted NUL-terminated ASCII
/// form, empty Unicode and ScriptCode forms and the 67-byte ScriptCode field;
/// for `textType` the NUL-terminated text; for `XYZType` one 12-byte number;
/// for `curveType` a count and one gamma.
pub open spec fn tag_element_len(t: IccTagView) -> int {
    match t {
        IccTagView::TextDescription(_, s) => 91 + s.len() as int,
        IccTagView::Text(_, s) => 9 + s.len() as int,
        IccTagView::Xyz(_, _, _, _) => 20,
        IccTagView::Gamma(_, _) => 14,
    }
}

/// The element lengths of the tags, each with up to 3 bytes of padding.
pub open spec fn elements_bound(tags: Seq<IccTagView>) -> int
    decreases tags.len(),
{
    if tags.len() == 0 {
        0
    } else {
        elements_bound(tags.drop_last()) + tag_element_len(tags.last()) + 3
    }
}

/// An upper bound on the serialized length: header, tag count, tag table and
/// the padded elements.
pub open spec fn icc_size_bound(tags: Seq<IccTagView>) -> int {
    132 + 12 * tags.len() + elements_bound(tags)
}

/// The bound of a tag list is the sum of its parts' bounds.
pub proof fn lemma_elements_bound_concat(a: Seq<IccTagView>, b: Seq<IccTagView>)
    ensures
        elements_bound(a + b) == elements_bound(a) + elements_bound(b),
    decreases b.len(),
{
    if b.len() == 0 {
        assert(a + b =~= a);
    } else {
        assert((a + b).drop_last() =~= a + b.drop_last());
        assert((a + b).last() == b.last());
        lemma_elements_bound_concat(a, b.drop_last());
    }
}

/// Each XYZ tag adds 23 bytes to the bound.
pub proof fn lemma_elements_bound_xyz(xs: Seq<IccXyz>)
    ensures
        elements_bound(xs.map_values(|t: IccXyz| xyz_tag(t))) == 23 * xs.len(),
    decreases xs.len(),
{
    if xs.len() > 0 {
        let m = xs.map_values(|t: IccXyz| xyz_tag(t));
        assert(m.drop_last() =~= xs.drop_last().map_values(|t: IccXyz| xyz_tag(t)));
        lemma_elements_bound_xyz(xs.drop_last());
    }
}

/// Each gamma tag adds 17 bytes to the bound.
pub proof fn lemma_elements_bound_gamma(xs: Seq<IccGamma>)
    ensures
        elements_bound(xs.map_values(|t: IccGamma| gamma_tag(t))) == 17 * xs.len(),
    decreases xs.len(),
{
    if xs.len() > 0 {
        let m = xs.map_values(|t: IccGamma| gamma_tag(t));
        assert(m.drop_last() =~= xs.drop_last().map_values(|t: IccGamma| gamma_tag(t)));
        lemma_elements_bound_gamma(xs.drop_last());
    }
}

/// The size bound of a matrix/TRC profile: the two texts' bounds, 23 bytes per
/// XYZ tag and 17 per gamma tag, after the header and tag table.
pub proof fn lemma_matrix_trc_size_bound(p: MatrixTrcView)
    ensures
        icc_size_bound(matrix_trc_tags(p)) == 132 + 12 * (2 + p.xyz.len() + p.trc.len()) + (94 + p.desc.len())
            + (12 + p.cprt.len()) + 23 * p.xyz.len() + 17 * p.trc.len(),
{
    let head = seq![IccTagView::TextDescription(p.desc_sig, p.desc), IccTagView::Text(p.cprt_sig, p.cprt)];
    let xs = p.xyz.map_values(|t: IccXyz| xyz_tag(t));
    let gs = p.trc.map_values(|t: IccGamma| gamma_tag(t));
    lemma_elements_bound_concat(head, xs);
    lemma_elements_bound_concat(head + xs, gs);
    lemma_elements_bound_xyz(p.xyz);
    lemma_elements_bound_gamma(p.trc);
    assert(head.drop_last() =~= seq![IccTagView::TextDescription(p.desc_sig, p.desc)]);
    assert(head.drop_last().drop_last() =~= Seq::<IccTagView>::empty());
    reveal_with_fuel(elements_bound, 3);
    assert(elements_bound(head) == (94 + p.desc.len()) + (12 + p.cprt.len()));
}

/// The header of a matrix/TRC profile.
pub open spec fn matrix_trc_header(p: MatrixTrcView) -> IccHeaderView {
    header_view(p.class, p.space, p.version)
}

/// The tags of a matrix/TRC profile in serialization order.
pub open spec fn matrix_trc_tags(p: MatrixTrcView) -> Seq<IccTagView> {
    seq![IccTagView::TextDescription(p.desc_sig, p.desc), IccTagView::Text(p.cprt_sig, p.cprt)]
        + p.xyz.map_values(|t: IccXyz| xyz_tag(t)) + p.trc.map_values(|t: IccGamma| gamma_tag(t))
}

pub open spec fn xyz_tag(t: IccXyz) -> IccTagView {
    IccTagView::Xyz(t.sig@, t.x, t.y, t.z)
}

pub open spec fn gamma_tag(t: IccGamma) -> IccTagView {
    IccTagView::Gamma(t.sig@, t.gamma)
}

/// A known class and colour space.
pub open spec fn header_known(p: MatrixTrcView) -> bool {
    is_known_class(p.class) && is_known_space(p.space)
}

/// What `gamut-icc` accepts: a known class and colour space, distinct tag
/// signatures, and NUL-free ASCII text.
pub open spec fn matrix_trc_serializable(p: MatrixTrcView) -> bool {
    &&& header_known(p)
    &&& tags_serializable(matrix_trc_tags(p))
}

/// The bytes `gamut-icc` serializes a matrix/TRC profile to.
pub open spec fn icc_matrix_trc_bytes(p: MatrixTrcView) -> Seq<u8> {
    icc_profile_bytes(matrix_trc_header(p), matrix_trc_tags(p))
}

/// The header and tag table of the serialized matrix/TRC profile.
pub open spec fn icc_layout_matches(b: Seq<u8>, p: MatrixTrcView) -> bool {
    icc_layout(b, matrix_trc_header(p), matrix_trc_tags(p))
}

/// The tags a `gamut_icc::IccProfile` holds, in order.
pub uninterp spec fn icc_profile_tags(g: GamutProfile) -> Seq<IccTagView>;

/// The header fields a `gamut_icc::IccProfile` was built with.
pub uninterp spec fn icc_profile_header(g: GamutProfile) -> IccHeaderView;

/// The bytes `gamut_icc::IccProfile::to_bytes` writes for a header and tags.
pub uninterp spec fn icc_profile_bytes(h: IccHeaderView, tags: Seq<IccTagView>) -> Seq<u8>;

/// Whether `gamut_icc::IccProfile::parse` accepts the bytes.
pub uninterp spec fn icc_parses(b: Seq<u8>) -> bool;

#[verifier::external_type_specification]
#[verifier::external_body]
pub struct ExGamutIccError(GamutIccError);

#[verifier::external_type_specification]
#[verifier::external_body]
pub struct ExGamutProfile(GamutProfile);

/// A `gamut_icc::IccProfile` with no tags and the header of
/// `ProfileHeader::new`, for the class and colour space converted from their
/// signatures by `DeviceClass::try_from` and `ColorSpace::try_from`, with the
/// version set as given.
///
/// Trusted: the conversions fail exactly on a signature outside the seven
/// classes, and outside the named colour spaces and `nCLR` for 2 to 15.
#[verifier::external_body]
fn icc_profile_new(p: &MatrixTrcProfile) -> (r: Result<GamutProfile, GamutIccError>)
    ensures
        r is Ok <==> header_known(p@),
        r matches Ok(g) ==> icc_profile_header(g) == matrix_trc_header(p@),
        r matches Ok(g) ==> icc_profile_tags(g) == Seq::<IccTagView>::empty(),
{
    let mut header = ProfileHeader::new(Signature(p.class).try_into()?, Signature(p.space).try_into()?);
    header.version = ProfileVersion { major: p.version[0], minor: p.version[1], bugfix: p.version[2] };
    Ok(GamutProfile { header, tags: Vec::new() })
}

/// Appends a `TagData::TextDescription` tag whose ASCII form is `text`.
#[verifier::external_body]
fn icc_push_text_description(g: &mut GamutProfile, t: IccText)
    ensures
        icc_profile_header(*final(g)) == icc_profile_header(*old(g)),
        icc_profile_tags(*final(g)) == icc_profile_tags(*old(g)).push(
            IccTagView::TextDescription(t.sig@, t.text@),
        ),
{
    let data = TextDescription { ascii: t.text, ..Default::default() };
    g.tags.push((Signature(t.sig), TagData::TextDescription(data)));
}

/// Appends a `TagData::Text` tag.
#[verifier::external_body]
fn icc_push_text(g: &mut GamutProfile, t: IccText)
    ensures
        icc_profile_header(*final(g)) == icc_profile_header(*old(g)),
        icc_profile_tags(*final(g)) == icc_profile_tags(*old(g)).push(IccTagView::Text(t.sig@, t.text@)),
{
    g.tags.push((Signature(t.sig), TagData::Text(t.text)));
}

/// Appends a `TagData::Xyz` tag holding one XYZ number.
#[verifier::external_body]
fn icc_push_xyz(g: &mut GamutProfile, t: IccXyz)
    ensures
        icc_profile_header(*final(g)) == icc_profile_header(*old(g)),
        icc_profile_tags(*final(g)) == icc_profile_tags(*old(g)).push(xyz_tag(t)),
{
    let xyz = XyzNumber { x: S15Fixed16(t.x), y: S15Fixed16(t.y), z: S15Fixed16(t.z) };
    g.tags.push((Signature(t.sig), TagData::Xyz(vec![xyz])));
}

/// Appends a `TagData::Curve` tag holding `Curve::Gamma`.
#[verifier::external_body]
fn icc_push_gamma(g: &mut GamutProfile, t: IccGamma)
    ensures
        icc_profile_header(*final(g)) == icc_profile_header(*old(g)),
        icc_profile_tags(*final(g)) == icc_profile_tags(*old(g)).push(gamma_tag(t)),
{
    g.tags.push((Signature(t.sig), TagData::Curve(Curve::Gamma(U8Fixed8(t.gamma)))));
}

/// `gamut_icc::IccProfile::to_bytes`.
///
/// Trusted: for the tags built here, the writer fails exactly on a duplicate
/// signature or non-ASCII or NUL-bearing text; on success it emits the 128-byte
/// header (size patched to the length, the version, class and colour space,
/// the `XYZ ` connection space, the `acsp` magic) and a tag table listing every
/// tag in order, followed by each distinct element padded to 4 bytes, so the
/// output is at most `icc_size_bound` long. The element data is not described.
#[verifier::external_body]
fn icc_profile_to_bytes(g: &GamutProfile) -> (r: Result<Vec<u8>, GamutIccError>)
    ensures
        r is Ok <==> tags_serializable(icc_profile_tags(*g)),
        r matches Ok(b) ==> b@ == icc_profile_bytes(icc_profile_header(*g), icc_profile_tags(*g))
            && icc_layout(b@, icc_profile_header(*g), icc_profile_tags(*g)),
        r matches Ok(b) ==> b@.len() <= icc_size_bound(icc_profile_tags(*g)),
{
    g.to_bytes()
}

/// Serializes a matrix/TRC profile with `gamut-icc`: a header for its class,
/// colour space and version, then its tags in `MatrixTrcProfile` order.
pub fn serialize_matrix_trc(p: &MatrixTrcProfile) -> (r: Result<Vec<u8>, GamutIccError>)
    ensures
        r is Ok <==> matrix_trc_serializable(p@),
        r matches Ok(b) ==> b@ == icc_matrix_trc_bytes(p@) && icc_layout_matches(b@, p@),
        r matches Ok(b) ==> b@.len() <= icc_size_bound(matrix_trc_tags(p@)),
{
    let mut g = match icc_profile_new(p) {
        Ok(g) => g,
        Err(e) => return Err(e),
    };
    icc_push_text_description(&mut g, IccText { sig: p.desc.sig, text: p.desc.text.clone() });
    icc_push_text(&mut g, IccText { sig: p.cprt.sig, text: p.cprt.text.clone() });
    let ghost head = seq![
        IccTagView::TextDescription(p@.desc_sig, p@.desc),
        IccTagView::Text(p@.cprt_sig, p@.cprt),
    ];
    assert(icc_profile_tags(g) =~= head);
    let mut i: usize = 0;
    while i < p.xyz.len()
        invariant
            i <= p.xyz.len(),
            icc_profile_header(g) == matrix_trc_header(p@),
            icc_profile_tags(g) == head + p@.xyz.take(i as int).map_values(|t: IccXyz| xyz_tag(t)),
        decreases p.xyz.len() - i,
    {
        icc_push_xyz(&mut g, p.xyz[i]);
        assert(p@.xyz.take(i + 1).map_values(|t: IccXyz| xyz_tag(t)) =~= p@.xyz.take(
            i as int,
        ).map_values(|t: IccXyz| xyz_tag(t)).push(xyz_tag(p@.xyz[i as int])));
        i = i + 1;
    }
    assert(p@.xyz.take(i as int) =~= p@.xyz);
    let ghost mid = head + p@.xyz.map_values(|t: IccXyz| xyz_tag(t));
    let mut j: usize = 0;
    while j < p.trc.len()
        invariant
            j <= p.trc.len(),
            icc_profile_header(g) == matrix_trc_header(p@),
            icc_profile_tags(g) == mid + p@.trc.take(j as int).map_values(|t: IccGamma| gamma_tag(t)),
        decreases p.trc.len() - j,
    {
        icc_push_gamma(&mut g, p.trc[j]);
        assert(p@.trc.take(j + 1).map_values(|t: IccGamma| gamma_tag(t)) =~= p@.trc.take(
            j as int,
        ).map_values(|t: IccGamma| gamma_tag(t)).push(gamma_tag(p@.trc[j as int])));
        j = j + 1;
    }
    assert(p@.trc.take(j as int) =~= p@.trc);
    assert(icc_profile_tags(g) =~= matrix_trc_tags(p@));
    icc_profile_to_bytes(&g)
}

/// Whether `gamut_icc::IccProfile::parse` accepts `data` (header, tag table,
/// and every tag's element data). Trusted to report exactly that.
#[verifier::external_body]
pub fn profile_parses(data: &[u8]) -> (r: bool)
    ensures
        r == icc_parses(data@),
{
    GamutProfile::parse(data).is_ok()
}

} // verus!
