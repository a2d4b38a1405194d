use rawshift::metadata::xmp::{
    append_xmp_to_avif, append_xmp_to_jpeg, append_xmp_to_jpeg_checked, XmpError,
};

/// Adobe XMP namespace marker used in JPEG APP1 segments.
const XMP_JPEG_NS: &[u8] = b"http://ns.adobe.com/xap/1.0/\0";

/// A minimal well-formed XMP body (`rdf:RDF` is required by the validator).
const VALID_XMP: &[u8] = b"<x:xmpmeta xmlns:x=\"adobe:ns:meta/\">\
    <rdf:RDF xmlns:rdf=\"http://www.w3.org/1999/02/22-rdf-syntax-ns#\"/>\
    </x:xmpmeta>";

#[test]
fn test_append_xmp_to_jpeg_basic() {
    // Build a minimal valid JPEG: SOI + APP0 (JFIF) + EOI
    let mut jpeg = Vec::new();
    jpeg.extend_from_slice(&[0xFF, 0xD8]); // SOI
    // APP0 (JFIF marker)
    jpeg.extend_from_slice(&[0xFF, 0xE0]);
    let app0_len: u16 = 16;
    jpeg.extend_from_slice(&app0_len.to_be_bytes());
    jpeg.extend_from_slice(b"JFIF\0");
    jpeg.extend_from_slice(&[1, 1, 0, 0, 1, 0, 1, 0, 0]); // JFIF header rest
    jpeg.extend_from_slice(&[0xFF, 0xD9]); // EOI

    let xmp = VALID_XMP;
    let result = append_xmp_to_jpeg(xmp, jpeg).expect("XMP embed should succeed");

    // Must still be a valid JPEG (starts with SOI)
    assert_eq!(&result[0..2], &[0xFF, 0xD8]);
    // Must contain the XMP namespace prefix
    let has_ns = result.windows(XMP_JPEG_NS.len()).any(|w| w == XMP_JPEG_NS);
    assert!(has_ns, "output must contain XMP namespace marker");
    // Must contain the XMP payload
    let has_xmp = result.windows(xmp.len()).any(|w| w == xmp);
    assert!(has_xmp, "output must contain XMP payload");
}

#[test]
fn test_malformed_xmp_is_rejected() {
    // Not XML at all → every embed path must refuse to splice it in.
    let avif = vec![0u8; 32];
    assert!(matches!(
        append_xmp_to_avif(b"not xmp", avif),
        Err(XmpError::Invalid(_))
    ));
    // XML without an rdf:RDF element is not an XMP packet either.
    assert!(matches!(
        append_xmp_to_avif(b"<x:xmpmeta xmlns:x=\"adobe:ns:meta/\"/>", vec![0u8; 8]),
        Err(XmpError::Invalid(_))
    ));
}

#[test]
fn test_append_xmp_to_avif() {
    // `append_xmp_to_avif` only appends a trailing `xml ` box, so the
    // leading bytes need not form a real container for this unit test.
    let avif = vec![0u8; 32];
    let xmp = VALID_XMP;
    let result = append_xmp_to_avif(xmp, avif).expect("AVIF XMP embed should succeed");

    let box_size = (8 + xmp.len()) as u32;
    assert_eq!(result.len(), 32 + box_size as usize);
    assert_eq!(&result[32..36], &box_size.to_be_bytes());
    assert_eq!(&result[36..40], b"xml ");
    assert_eq!(&result[40..], xmp);
}

#[test]
fn long_invalid_xmp_is_rejected_as_invalid() {
    let long = vec![b'x'; 70000];
    assert!(matches!(
        append_xmp_to_jpeg(&long, b"not a jpeg".to_vec()),
        Err(XmpError::Invalid(_))
    ));
}

#[test]
fn checked_xmp_embed_refuses_only_valid_oversized_packets() {
    let mut big = VALID_XMP.to_vec();
    big.extend_from_slice(&vec![b' '; 70000]);
    assert!(append_xmp_to_jpeg_checked(&big, b"not a jpeg".to_vec()).is_none());
    let long_invalid = vec![b'x'; 70000];
    assert!(matches!(
        append_xmp_to_jpeg_checked(&long_invalid, b"not a jpeg".to_vec()),
        Some(Err(XmpError::Invalid(_)))
    ));
    assert!(matches!(
        append_xmp_to_jpeg_checked(VALID_XMP, b"not a jpeg".to_vec()),
        Some(Err(XmpError::Container(_)))
    ));
}
