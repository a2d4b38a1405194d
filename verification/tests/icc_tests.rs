use gamut_icc::{KnownTag, S15Fixed16, TagData};
use rawshift::metadata::icc::IccProfile;

#[test]
fn test_srgb_profile_valid() {
    let profile = IccProfile::srgb();
    assert!(profile.is_valid(), "sRGB profile should be valid");
}

#[test]
fn test_srgb_profile_size() {
    let profile = IccProfile::srgb();
    let bytes = profile.as_bytes();
    // Minimal sRGB profile should be ~300-600 bytes
    assert!(
        bytes.len() > 200,
        "sRGB profile should be at least 200 bytes, got {}",
        bytes.len()
    );
    assert!(
        bytes.len() < 2000,
        "sRGB profile should be under 2KB, got {}",
        bytes.len()
    );
}

#[test]
fn test_srgb_profile_header() {
    let profile = IccProfile::srgb();
    let bytes = profile.as_bytes();

    // Check magic 'acsp' at offset 36
    assert_eq!(&bytes[36..40], b"acsp", "ICC magic should be 'acsp'");

    // Check profile version (2.1.0.0)
    assert_eq!(bytes[8], 2, "Major version should be 2");
    assert_eq!(bytes[9], 0x10, "Minor version should be 1.0");

    // Check device class 'mntr' at offset 12
    assert_eq!(&bytes[12..16], b"mntr", "Device class should be 'mntr'");

    // Check color space 'RGB ' at offset 16
    assert_eq!(&bytes[16..20], b"RGB ", "Color space should be 'RGB '");
}

#[test]
fn test_srgb_profile_content() {
    // The typed values must survive a parse round-trip with the exact
    // fixed-point encodings.

    let parsed = gamut_icc::IccProfile::parse(IccProfile::srgb().as_bytes()).expect("parse");
    match parsed.get(KnownTag::RedColorant) {
        Some(TagData::Xyz(v)) => {
            assert_eq!(v[0].x, S15Fixed16(0x0000_6FA2));
            assert_eq!(v[0].y, S15Fixed16(0x0000_38F5));
            assert_eq!(v[0].z, S15Fixed16(0x0000_0390));
        }
        other => panic!("rXYZ must be an XYZ tag, got {other:?}"),
    }
    match parsed.get(KnownTag::MediaWhitePoint) {
        Some(TagData::Xyz(v)) => {
            assert_eq!(v[0].y, S15Fixed16(0x0001_0000));
        }
        other => panic!("wtpt must be an XYZ tag, got {other:?}"),
    }
    assert!(
        matches!(parsed.get(KnownTag::RedTrc), Some(TagData::Curve(_))),
        "rTRC must be a curve tag"
    );
}

#[test]
fn test_profile_from_bytes() {
    let fake_profile = vec![0u8; 100];
    let profile = IccProfile::from_bytes(fake_profile);
    assert!(!profile.is_valid(), "Fake profile should not be valid");
}

// Build a minimal valid JXL container with just a signature + ftyp + jxlc box.
fn make_jxl_container(codestream: &[u8]) -> Vec<u8> {
    let jxlc_size = (8 + codestream.len()) as u32;
    let mut c = Vec::new();
    // signature box
    c.extend_from_slice(&[0x00, 0x00, 0x00, 0x0C]);
    c.extend_from_slice(b"JXL ");
    c.extend_from_slice(&[0x0D, 0x0A, 0x87, 0x0A]);
    // ftyp
    c.extend_from_slice(&[0x00, 0x00, 0x00, 0x14]);
    c.extend_from_slice(b"ftyp");
    c.extend_from_slice(b"jxl ");
    c.extend_from_slice(&[0x00, 0x00, 0x00, 0x00]);
    c.extend_from_slice(b"jxl ");
    // jxlc
    c.extend_from_slice(&jxlc_size.to_be_bytes());
    c.extend_from_slice(b"jxlc");
    c.extend_from_slice(codestream);
    c
}

fn jxl_has_iccp(data: &[u8]) -> bool {
    let mut pos = 0;
    while pos + 8 <= data.len() {
        let sz = u32::from_be_bytes(data[pos..pos + 4].try_into().unwrap()) as usize;
        if sz < 8 {
            break;
        }
        if &data[pos + 4..pos + 8] == b"iccp" {
            return true;
        }
        pos += sz;
    }
    false
}

#[test]
fn test_append_to_jxl_naked_codestream() {
    // Fake naked JXL codestream (just the magic bytes + padding)
    let mut naked = vec![0xFF, 0x0A];
    naked.extend_from_slice(&[0u8; 16]);

    let profile = IccProfile::srgb();
    let result = profile.append_to_jxl(naked).expect("append_to_jxl failed");

    // Must be a container
    assert!(
        result.get(4..8) == Some(b"JXL "),
        "Output should be JXL container"
    );
    // Must contain iccp box
    assert!(jxl_has_iccp(&result), "Output should have iccp box");
}

#[test]
fn test_append_to_jxl_container_form() {
    let container = make_jxl_container(&[0xFF, 0x0A, 0x00]);
    let profile = IccProfile::srgb();
    let result = profile
        .append_to_jxl(container)
        .expect("append_to_jxl failed");

    assert!(
        result.get(4..8) == Some(b"JXL "),
        "Output should still be JXL container"
    );
    assert!(jxl_has_iccp(&result), "Output should have iccp box");
}

#[test]
fn test_append_to_jxl_invalid_data() {
    let bad_data = vec![0x00, 0x01, 0x02, 0x03, 0x04, 0x05, 0x06, 0x07];
    let profile = IccProfile::srgb();
    let result = profile.append_to_jxl(bad_data);
    assert!(result.is_err(), "Should error on unrecognized JXL data");
}

fn jxl_box(typ: &[u8; 4], payload: &[u8]) -> Vec<u8> {
    let mut b = ((8 + payload.len()) as u32).to_be_bytes().to_vec();
    b.extend_from_slice(typ);
    b.extend_from_slice(payload);
    b
}

#[test]
fn jxl_iccp_goes_at_the_end_past_a_jbrd_box() {
    let mut data = make_jxl_container(&[0xFF, 0x0A, 0x00]);
    data.extend_from_slice(&jxl_box(b"jbrd", &[1, 2, 3]));
    let icc = vec![5u8; 6];
    let out = IccProfile::from_bytes(icc.clone()).append_to_jxl(data.clone()).unwrap();
    assert_eq!(&out[..data.len()], &data[..]);
    assert_eq!(&out[data.len()..data.len() + 4], &14u32.to_be_bytes());
    assert_eq!(&out[data.len() + 4..data.len() + 8], b"iccp");
    assert_eq!(&out[data.len() + 8..], &icc[..]);
}

#[test]
fn jxl_iccp_goes_before_exif_and_xml() {
    let base = make_jxl_container(&[0xFF, 0x0A, 0x00]);
    for typ in [b"Exif", b"xml "] {
        let mut data = base.clone();
        data.extend_from_slice(&jxl_box(typ, &[9, 9]));
        let icc = vec![1u8, 2];
        let out = IccProfile::from_bytes(icc.clone()).append_to_jxl(data.clone()).unwrap();
        let k = base.len();
        assert_eq!(&out[..k], &base[..]);
        assert_eq!(&out[k + 4..k + 8], b"iccp");
        assert_eq!(&out[k + 8..k + 10], &icc[..]);
        assert_eq!(&out[k + 10..], &data[k..]);
    }
}

#[test]
fn srgb_profile_length_is_within_its_bound() {
    let n = IccProfile::srgb().as_bytes().len();
    assert!((240..=506).contains(&n));
}
