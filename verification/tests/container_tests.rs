use rawshift::bytes::{read_u32_be, write_u32_be};
use rawshift::isobmff::{find_box, patch_iloc_extents, IlocError};
use rawshift::metadata::icc::{IccError, IccProfile};
use rawshift::metadata::xmp::{append_xmp_to_jpeg, XmpError};

const VALID_XMP: &[u8] = b"<x:xmpmeta xmlns:x=\"adobe:ns:meta/\">\
    <rdf:RDF xmlns:rdf=\"http://www.w3.org/1999/02/22-rdf-syntax-ns#\"/>\
    </x:xmpmeta>";

fn boxed(typ: &[u8; 4], payload: &[u8]) -> Vec<u8> {
    let mut b = Vec::new();
    b.extend_from_slice(&((8 + payload.len()) as u32).to_be_bytes());
    b.extend_from_slice(typ);
    b.extend_from_slice(payload);
    b
}

/// A version-0 `iloc` box with 4-byte offsets and lengths and one item with
/// one extent at `offset`.
fn iloc_v0(offset: u32) -> Vec<u8> {
    let mut p = vec![0, 0, 0, 0, 0x44, 0x00];
    p.extend_from_slice(&1u16.to_be_bytes()); // item count
    p.extend_from_slice(&1u16.to_be_bytes()); // item id
    p.extend_from_slice(&0u16.to_be_bytes()); // data reference index
    p.extend_from_slice(&1u16.to_be_bytes()); // extent count
    p.extend_from_slice(&offset.to_be_bytes());
    p.extend_from_slice(&4u32.to_be_bytes());
    boxed(b"iloc", &p)
}

/// ftyp (16) + meta(iloc, iprp(ipco(extra..., ispe))) + mdat with a 4-byte payload
/// that the iloc extent points at.
fn make_avif(extra_ipco: &[u8]) -> Vec<u8> {
    let ftyp = boxed(b"ftyp", b"avif\0\0\0\0");
    let mut ipco_payload = extra_ipco.to_vec();
    ipco_payload.extend_from_slice(&boxed(b"ispe", &[0u8; 12]));
    let iprp = boxed(b"iprp", &boxed(b"ipco", &ipco_payload));
    let iloc_len = iloc_v0(0).len();
    let meta_len = 12 + iloc_len + iprp.len();
    let payload_at = (ftyp.len() + meta_len + 8) as u32;
    let mut meta_payload = vec![0u8; 4];
    meta_payload.extend_from_slice(&iloc_v0(payload_at));
    meta_payload.extend_from_slice(&iprp);
    let mut out = ftyp;
    out.extend_from_slice(&boxed(b"meta", &meta_payload));
    out.extend_from_slice(&boxed(b"mdat", &[0xDE, 0xAD, 0xBE, 0xEF]));
    out
}

fn be32(data: &[u8], pos: usize) -> u32 {
    u32::from_be_bytes([data[pos], data[pos + 1], data[pos + 2], data[pos + 3]])
}

#[test]
fn find_box_walks_sibling_boxes() {
    let mut data = boxed(b"free", &[0u8; 4]);
    data.extend_from_slice(&boxed(b"meta", &[1, 2, 3]));
    assert_eq!(find_box(&data, 0, data.len(), *b"meta"), Some(12));
    assert_eq!(find_box(&data, 0, data.len(), *b"mdat"), None);
    // A range that ends inside the second box hides it.
    assert_eq!(find_box(&data, 0, 15, *b"meta"), None);
}

#[test]
fn find_box_stops_at_a_box_shorter_than_its_header() {
    let mut data = vec![0, 0, 0, 4];
    data.extend_from_slice(b"free");
    data.extend_from_slice(&boxed(b"meta", &[]));
    assert_eq!(find_box(&data, 0, data.len(), *b"meta"), None);
}

#[test]
fn read_and_write_u32_be() {
    let mut v = vec![0u8, 0, 1, 2, 9];
    assert_eq!(read_u32_be(&v, 0), 258);
    write_u32_be(&mut v, 1, 0xA1B2_C3D4);
    assert_eq!(v, vec![0, 0xA1, 0xB2, 0xC3, 0xD4]);
}

#[test]
fn iloc_extent_offset_moves_by_delta() {
    let mut data = iloc_v0(100);
    patch_iloc_extents(&mut data, 0, 10).unwrap();
    assert_eq!(be32(&data, 22), 110);
    // Length fields and the rest are untouched.
    assert_eq!(be32(&data, 26), 4);
    patch_iloc_extents(&mut data, 0, -10).unwrap();
    assert_eq!(data, iloc_v0(100));
}

#[test]
fn iloc_base_offset_is_moved_instead_of_extents() {
    // Version 1 with a 4-byte base offset: the base offset moves, the extent offset stays.
    let mut p = vec![1, 0, 0, 0, 0x44, 0x40];
    p.extend_from_slice(&1u16.to_be_bytes()); // item count
    p.extend_from_slice(&7u16.to_be_bytes()); // item id
    p.extend_from_slice(&0u16.to_be_bytes()); // construction method 0
    p.extend_from_slice(&0u16.to_be_bytes()); // data reference index
    p.extend_from_slice(&500u32.to_be_bytes()); // base offset
    p.extend_from_slice(&1u16.to_be_bytes()); // extent count
    p.extend_from_slice(&3u32.to_be_bytes()); // extent offset
    p.extend_from_slice(&4u32.to_be_bytes()); // extent length
    let mut data = boxed(b"iloc", &p);
    patch_iloc_extents(&mut data, 0, 20).unwrap();
    assert_eq!(be32(&data, 22), 520);
    assert_eq!(be32(&data, 28), 3);
}

#[test]
fn iloc_other_construction_methods_are_left_alone() {
    // Construction method 1 (idat): nothing in this file's layout moves.
    let mut p = vec![1, 0, 0, 0, 0x44, 0x00];
    p.extend_from_slice(&1u16.to_be_bytes());
    p.extend_from_slice(&1u16.to_be_bytes());
    p.extend_from_slice(&1u16.to_be_bytes()); // construction method 1
    p.extend_from_slice(&0u16.to_be_bytes());
    p.extend_from_slice(&1u16.to_be_bytes());
    p.extend_from_slice(&40u32.to_be_bytes());
    p.extend_from_slice(&4u32.to_be_bytes());
    let original = boxed(b"iloc", &p);
    let mut data = original.clone();
    patch_iloc_extents(&mut data, 0, 20).unwrap();
    assert_eq!(data, original);
}

#[test]
fn iloc_errors_leave_the_buffer_untouched() {
    // A relocated offset below zero.
    let original = iloc_v0(5);
    let mut data = original.clone();
    assert_eq!(patch_iloc_extents(&mut data, 0, -6), Err(IlocError::OffsetOutOfRange));
    assert_eq!(data, original);

    // A relocated offset past 32 bits.
    let original = iloc_v0(0xFFFF_FFF0);
    let mut data = original.clone();
    assert_eq!(patch_iloc_extents(&mut data, 0, 0x10), Err(IlocError::OffsetOutOfRange));
    assert_eq!(data, original);

    // Version 3.
    let mut data = iloc_v0(5);
    data[8] = 3;
    let original = data.clone();
    assert_eq!(patch_iloc_extents(&mut data, 0, 1), Err(IlocError::UnsupportedVersion));
    assert_eq!(data, original);

    // A 2-byte offset field.
    let mut data = iloc_v0(5);
    data[12] = 0x24;
    assert_eq!(patch_iloc_extents(&mut data, 0, 1), Err(IlocError::UnsupportedFieldSize));

    // A box too short for its header.
    let mut data = boxed(b"iloc", &[0, 0, 0, 0, 0x44]);
    assert_eq!(patch_iloc_extents(&mut data, 0, 1), Err(IlocError::Truncated));

    // An item whose extents run past the box.
    let mut data = iloc_v0(5);
    data[21] = 2; // two extents declared, one present
    assert_eq!(patch_iloc_extents(&mut data, 0, 1), Err(IlocError::Truncated));
}

#[test]
fn avif_icc_is_inserted_into_ipco_and_offsets_follow() {
    let avif = make_avif(&[]);
    assert_eq!(avif.len(), 106);
    assert_eq!(be32(&avif, 50), 102);
    let icc = vec![1u8, 2, 3, 4, 5];
    let out = IccProfile::from_bytes(icc.clone()).append_to_avif(avif.clone()).unwrap();
    // colr rICC box of 12 + 5 bytes at the start of ipco's content.
    assert_eq!(out.len(), 106 + 17);
    assert_eq!(be32(&out, 74), 17);
    assert_eq!(&out[78..82], b"colr");
    assert_eq!(&out[82..86], b"rICC");
    assert_eq!(&out[86..91], &icc[..]);
    assert_eq!(&out[95..99], b"ispe");
    // ipco, iprp and meta grow by the box size.
    assert_eq!(be32(&out, 66), 28 + 17);
    assert_eq!(be32(&out, 58), 36 + 17);
    assert_eq!(be32(&out, 16), 78 + 17);
    // The ftyp box is untouched, and the mdat payload is where iloc now points.
    assert_eq!(&out[..16], &avif[..16]);
    assert_eq!(be32(&out, 50), 102 + 17);
    assert_eq!(&out[119..123], &[0xDE, 0xAD, 0xBE, 0xEF]);
    assert_eq!(&out[94 + 17..], &avif[94..]);
}

#[test]
fn avif_existing_colr_box_is_replaced() {
    let mut nclx = b"nclx".to_vec();
    nclx.extend_from_slice(&[0, 1, 0, 13, 0, 6, 0x80]);
    let avif = make_avif(&boxed(b"colr", &nclx));
    let len = avif.len();
    let icc = vec![9u8; 5];
    let out = IccProfile::from_bytes(icc.clone()).append_to_avif(avif.clone()).unwrap();
    // The 19-byte nclx box gives way to a 17-byte rICC box.
    assert_eq!(out.len(), len - 2);
    assert_eq!(&out[78..86], b"colrrICC");
    assert_eq!(&out[86..91], &icc[..]);
    assert_eq!(&out[95..99], b"ispe");
    let iloc_offset = be32(&avif, 50);
    assert_eq!(be32(&out, 50), iloc_offset - 2);
    let at = (iloc_offset - 2) as usize;
    assert_eq!(&out[at..at + 4], &[0xDE, 0xAD, 0xBE, 0xEF]);
}

#[test]
fn avif_without_meta_is_rejected() {
    let data = boxed(b"ftyp", b"avif\0\0\0\0");
    match IccProfile::from_bytes(vec![1, 2, 3]).append_to_avif(data) {
        Err(IccError::Container(m)) => assert_eq!(m, "no meta box in AVIF"),
        other => panic!("expected a container error, got {other:?}"),
    }
}

#[test]
fn avif_without_iprp_or_ipco_is_rejected() {
    let mut data = boxed(b"ftyp", b"avif\0\0\0\0");
    data.extend_from_slice(&boxed(b"meta", &[0u8; 4]));
    match IccProfile::from_bytes(vec![1]).append_to_avif(data) {
        Err(IccError::Container(m)) => assert_eq!(m, "no iprp box in AVIF"),
        other => panic!("expected a container error, got {other:?}"),
    }
    let mut meta = vec![0u8; 4];
    meta.extend_from_slice(&boxed(b"iprp", &[]));
    let mut data = boxed(b"ftyp", b"avif\0\0\0\0");
    data.extend_from_slice(&boxed(b"meta", &meta));
    match IccProfile::from_bytes(vec![1]).append_to_avif(data) {
        Err(IccError::Container(m)) => assert_eq!(m, "no ipco box in AVIF"),
        other => panic!("expected a container error, got {other:?}"),
    }
}

#[test]
fn avif_bad_iloc_is_reported() {
    let mut avif = make_avif(&[]);
    avif[28 + 8] = 5; // iloc version 5
    match IccProfile::from_bytes(vec![1, 2, 3]).append_to_avif(avif) {
        Err(IccError::Container(m)) => assert_eq!(m, "unsupported iloc version"),
        other => panic!("expected a container error, got {other:?}"),
    }
}

fn minimal_jpeg_with_scan() -> Vec<u8> {
    let mut j = vec![0xFF, 0xD8];
    j.extend_from_slice(&[0xFF, 0xE0, 0x00, 0x10]);
    j.extend_from_slice(b"JFIF\0");
    j.extend_from_slice(&[1, 1, 0, 0, 1, 0, 1, 0, 0]);
    j.extend_from_slice(&[0xFF, 0xDA, 0x00, 0x08, 0x01, 0x01, 0x00, 0x00, 0x3F, 0x00]);
    j.extend_from_slice(&[0x12, 0x34]);
    j.extend_from_slice(&[0xFF, 0xD9]);
    j
}

fn find(haystack: &[u8], needle: &[u8]) -> Option<usize> {
    haystack.windows(needle.len()).position(|w| w == needle)
}

#[test]
fn jpeg_xmp_goes_before_the_scan() {
    let out = append_xmp_to_jpeg(VALID_XMP, minimal_jpeg_with_scan()).unwrap();
    let app1 = find(&out, b"http://ns.adobe.com/xap/1.0/\0").unwrap();
    let sos = find(&out, &[0xFF, 0xDA]).unwrap();
    assert!(app1 < sos);
    assert_eq!(&out[app1 - 4..app1 - 2], &[0xFF, 0xE1]);
    let len = u16::from_be_bytes([out[app1 - 2], out[app1 - 1]]) as usize;
    assert_eq!(len, 2 + 29 + VALID_XMP.len());
    assert_eq!(&out[app1 + 29..app1 + 29 + VALID_XMP.len()], VALID_XMP);
}

#[test]
fn jpeg_xmp_into_non_jpeg_is_a_container_error() {
    assert!(matches!(
        append_xmp_to_jpeg(VALID_XMP, b"not a jpeg".to_vec()),
        Err(XmpError::Container(_))
    ));
    // An invalid packet is reported first.
    assert!(matches!(
        append_xmp_to_jpeg(b"nope", b"not a jpeg".to_vec()),
        Err(XmpError::Invalid(_))
    ));
}

#[test]
fn jpeg_icc_is_embedded_in_app2() {
    let icc = IccProfile::srgb();
    let out = icc.append_to_jpeg(minimal_jpeg_with_scan()).unwrap();
    let tag = find(&out, b"ICC_PROFILE\0").unwrap();
    assert_eq!(&out[tag - 4..tag - 2], &[0xFF, 0xE2]);
    // Sequence number 1 of 1, then the profile bytes.
    assert_eq!(&out[tag + 12..tag + 14], &[1, 1]);
    let bytes = icc.as_bytes();
    assert_eq!(&out[tag + 14..tag + 14 + bytes.len()], bytes);
    assert_eq!(&out[..2], &[0xFF, 0xD8]);
}

#[test]
fn jpeg_icc_into_non_jpeg_is_a_container_error() {
    assert!(matches!(
        IccProfile::srgb().append_to_jpeg(vec![1, 2, 3]),
        Err(IccError::Container(_))
    ));
}

#[test]
fn avif_iloc_after_iprp_is_found_and_patched() {
    // meta(iprp(ipco(ispe)), iloc): the iloc box itself moves with the insertion.
    let ftyp = boxed(b"ftyp", b"avif\0\0\0\0");
    let iprp = boxed(b"iprp", &boxed(b"ipco", &boxed(b"ispe", &[0u8; 12])));
    let meta_len = 12 + iprp.len() + iloc_v0(0).len();
    let payload_at = (ftyp.len() + meta_len + 8) as u32;
    let mut meta_payload = vec![0u8; 4];
    meta_payload.extend_from_slice(&iprp);
    meta_payload.extend_from_slice(&iloc_v0(payload_at));
    let mut avif = ftyp;
    avif.extend_from_slice(&boxed(b"meta", &meta_payload));
    avif.extend_from_slice(&boxed(b"mdat", &[1, 2, 3, 4]));

    let iloc_at = 16 + 12 + iprp.len();
    assert_eq!(&avif[iloc_at + 4..iloc_at + 8], b"iloc");
    let icc = vec![7u8; 20];
    let out = IccProfile::from_bytes(icc).append_to_avif(avif.clone()).unwrap();
    let d = 32;
    assert_eq!(out.len(), avif.len() + d);
    assert_eq!(&out[iloc_at + d + 4..iloc_at + d + 8], b"iloc");
    let new_offset = be32(&out, iloc_at + d + 22) as usize;
    assert_eq!(new_offset, payload_at as usize + d);
    assert_eq!(&out[new_offset..new_offset + 4], &[1, 2, 3, 4]);
}

#[test]
fn avif_icc_embedding_twice_equals_once() {
    let p = IccProfile::from_bytes(vec![3u8; 9]);
    for avif in [make_avif(&[]), make_avif(&boxed(b"colr", b"nclx\0\x01\0\x0d\0\x06\x80"))] {
        let once = p.append_to_avif(avif).unwrap();
        let twice = p.append_to_avif(once.clone()).unwrap();
        assert_eq!(twice, once);
    }
}
