use rawshift::image::{CfaPattern, RawImage, Rect, Size};
use rawshift::processing::demosaic::{Bilinear, DemosaicError, DemosaicMethod};
use rawshift::transforms::cfa::{CfaTransform, DemosaicAlgorithm};

#[test]
fn test_demosaic_error_display() {
    let err = DemosaicError::BufferSizeMismatch {
        expected: 300,
        actual: 100,
    };
    let msg = err.message();
    assert!(msg.contains("300"));
    assert!(msg.contains("100"));

    let err = DemosaicError::InvalidDimensions;
    let msg = err.message();
    assert!(msg.contains("dimension"));
}

#[test]
fn demosaic_error_message_exact() {
    let err = DemosaicError::BufferSizeMismatch { expected: 12, actual: 0 };
    assert_eq!(err.message(), "buffer size mismatch: expected 12 elements, got 0");
}

fn raw_4x4(pattern: CfaPattern) -> RawImage {
    let mut raw = RawImage::new(Size::new(4, 4), Rect::from_coords(0, 0, 4, 4), 14, pattern);
    raw.data = (0..16u16).map(|i| i * 10).collect();
    raw
}

#[test]
fn bilinear_rggb_red_green_blue_sites() {
    let raw = raw_4x4(CfaPattern::Rggb);
    let img = Bilinear.demosaic(&raw);
    assert_eq!((img.width, img.height), (4, 4));
    assert_eq!(img.data.len(), 48);
    // (1, 1) is blue: red = mean of diagonals (0,0),(2,0),(0,2),(2,2) = (0+20+80+100)/4
    // green = mean of (1,0),(1,2),(0,1),(2,1) = (10+90+40+60)/4, blue = 50.
    let p = (1 * 4 + 1) * 3;
    assert_eq!(&img.data[p..p + 3], &[50, 50, 50]);
    // (2, 2) is red: red = 100, green = (60+140+90+110)/4 = 100,
    // blue = (50+70+130+150)/4 = 100.
    let p = (2 * 4 + 2) * 3;
    assert_eq!(&img.data[p..p + 3], &[100, 100, 100]);
    // (1, 0) is green on a red row: red = (0+20)/2, blue = vertical (10 (clamped) + 50)/2.
    let p = 1 * 3;
    assert_eq!(&img.data[p..p + 3], &[10, 10, 30]);
}

#[test]
fn bilinear_edges_read_zero_outside_the_sensor() {
    let raw = raw_4x4(CfaPattern::Bggr);
    let img = Bilinear.demosaic(&raw);
    // (3, 3) is red in BGGR: right and lower neighbours are outside (0).
    // green = (up 110 + down 0 + left 140 + right 0)/4 = 62
    // blue = (100 + 0 + 0 + 0)/4 = 25
    let p = (3 * 4 + 3) * 3;
    assert_eq!(&img.data[p..p + 3], &[150, 62, 25]);
}

#[test]
fn demosaic_into_rejects_wrong_buffer() {
    let raw = raw_4x4(CfaPattern::Grbg);
    let mut out = vec![0u16; 10];
    match Bilinear.demosaic_into(&raw, &mut out) {
        Err(DemosaicError::BufferSizeMismatch { expected, actual }) => {
            assert_eq!((expected, actual), (48, 10));
        }
        other => panic!("unexpected {:?}", other),
    }
    assert_eq!(out, vec![0u16; 10]);
}

#[test]
fn demosaic_uses_active_area_offset() {
    let mut raw = RawImage::new(Size::new(4, 4), Rect::from_coords(2, 2, 4, 4), 14, CfaPattern::Rggb);
    raw.data = (0..16u16).map(|i| i * 10).collect();
    let img = Bilinear.demosaic(&raw);
    assert_eq!((img.width, img.height), (2, 2));
    // Active (0, 0) is absolute (2, 2): red site.
    assert_eq!(&img.data[0..3], &[100, 100, 100]);
}

#[test]
fn cfa_transform_runs_bilinear_for_every_algorithm() {
    let raw = raw_4x4(CfaPattern::Gbrg);
    let expected = Bilinear.demosaic(&raw).data;
    for algorithm in [DemosaicAlgorithm::Bilinear, DemosaicAlgorithm::Ahd] {
        let img = CfaTransform::new(algorithm).apply(&raw).unwrap();
        assert_eq!(img.data, expected);
    }
}

#[test]
fn bilinear_keeps_each_recorded_sample() {
    for pattern in [CfaPattern::Rggb, CfaPattern::Grbg, CfaPattern::Gbrg, CfaPattern::Bggr] {
        let raw = raw_4x4(pattern);
        let img = Bilinear.demosaic(&raw);
        for y in 0..4usize {
            for x in 0..4usize {
                let (ex, ey) = (x % 2 == 0, y % 2 == 0);
                let recorded = match pattern {
                    CfaPattern::Rggb => if ex && ey { 0 } else if !ex && !ey { 2 } else { 1 },
                    CfaPattern::Grbg => if !ex && ey { 0 } else if ex && !ey { 2 } else { 1 },
                    CfaPattern::Gbrg => if ex && !ey { 0 } else if !ex && ey { 2 } else { 1 },
                    CfaPattern::Bggr => if !ex && !ey { 0 } else if ex && ey { 2 } else { 1 },
                };
                assert_eq!(img.data[(y * 4 + x) * 3 + recorded], raw.data[y * 4 + x]);
            }
        }
    }
}

#[test]
fn demosaic_matches_demosaic_into() {
    let raw = raw_4x4(CfaPattern::Gbrg);
    let img = Bilinear.demosaic(&raw);
    let mut buf = vec![7u16; 48];
    Bilinear.demosaic_into(&raw, &mut buf).unwrap();
    assert_eq!(img.data, buf);
}

#[test]
fn default_demosaic_returns_what_demosaic_into_writes() {
    let raw = raw_4x4(CfaPattern::Bggr);
    let mut buf = vec![0u16; 48];
    Bilinear.demosaic_into(&raw, &mut buf).unwrap();
    let img = DemosaicMethod::demosaic(&Bilinear, &raw);
    assert_eq!(img.data, buf);
}

fn raw_from(pattern: CfaPattern, w: u32, h: u32, data: Vec<u16>) -> RawImage {
    let mut raw = RawImage::new(Size::new(w, h), Rect::from_coords(0, 0, w, h), 14, pattern);
    raw.data = data;
    raw
}

#[test]
fn grbg_is_rggb_moved_one_column() {
    let (w, h) = (6usize, 4usize);
    let g_data: Vec<u16> = (0..(w * h) as u16).map(|i| i * 37 % 1000).collect();
    let mut r_data = vec![0u16; w * h];
    for y in 0..h {
        for x in 0..w - 1 {
            r_data[y * w + x] = g_data[y * w + x + 1];
        }
    }
    let g = Bilinear.demosaic(&raw_from(CfaPattern::Grbg, 6, 4, g_data));
    let r = Bilinear.demosaic(&raw_from(CfaPattern::Rggb, 6, 4, r_data));
    for y in 0..h {
        for x in 2..w {
            for c in 0..3 {
                assert_eq!(g.data[(y * w + x) * 3 + c], r.data[(y * w + x - 1) * 3 + c]);
            }
        }
    }
}

#[test]
fn bilinear_reads_only_the_three_by_three_neighbourhood() {
    let data: Vec<u16> = (0..24u16).map(|i| i * 11).collect();
    let mut changed = data.clone();
    changed[3 * 6 + 4] = 60000; // far from (1, 1)
    let a = Bilinear.demosaic(&raw_from(CfaPattern::Gbrg, 6, 4, data));
    let b = Bilinear.demosaic(&raw_from(CfaPattern::Gbrg, 6, 4, changed));
    let p = (1 * 6 + 1) * 3;
    assert_eq!(&a.data[p..p + 3], &b.data[p..p + 3]);
}
