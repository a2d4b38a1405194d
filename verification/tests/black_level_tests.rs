use rawshift::black_level::apply_black_level;
use rawshift::image::{CfaPattern, RawImage, Rect, Size};

fn make_raw(width: u32, height: u32, data: Vec<u16>, black_levels: [u16; 4]) -> RawImage {
    let size = Size::new(width, height);
    let active = Rect::from_coords(0, 0, width, height);
    let mut raw = RawImage::new(size, active, 14, CfaPattern::Rggb);
    raw.data = data;
    raw.black_levels = black_levels;
    raw
}

#[test]
fn no_op_when_all_zero() {
    let original = vec![100, 200, 300, 400];
    let mut raw = make_raw(2, 2, original.clone(), [0, 0, 0, 0]);
    apply_black_level(&mut raw);
    assert_eq!(raw.data, original);
}

#[test]
fn uniform_black_level() {
    let mut raw = make_raw(2, 2, vec![100, 200, 300, 400], [50, 50, 50, 50]);
    apply_black_level(&mut raw);
    assert_eq!(raw.data, vec![50, 150, 250, 350]);
}

#[test]
fn per_channel_subtraction() {
    // 2×2 image, each pixel at a different Bayer position
    // bl_idx mapping: (0,0)=0, (1,0)=1, (0,1)=2, (1,1)=3
    let mut raw = make_raw(2, 2, vec![1000, 1000, 1000, 1000], [10, 20, 30, 40]);
    apply_black_level(&mut raw);
    assert_eq!(raw.data, vec![990, 980, 970, 960]);
}

#[test]
fn saturating_subtraction_does_not_underflow() {
    let mut raw = make_raw(2, 1, vec![5, 10], [100, 100, 100, 100]);
    apply_black_level(&mut raw);
    assert_eq!(raw.data, vec![0, 0]);
}

#[test]
fn black_level_pattern_repeats_every_two_rows_and_columns() {
    // 3×3 image: positions (2, 0), (0, 2), (2, 2) reuse index 0.
    let mut raw = make_raw(3, 3, vec![500; 9], [1, 2, 3, 4]);
    apply_black_level(&mut raw);
    assert_eq!(raw.data, vec![499, 498, 499, 497, 496, 497, 499, 498, 499]);
}

#[test]
fn black_level_on_empty_data_is_noop() {
    let mut raw = make_raw(0, 0, Vec::new(), [7, 7, 7, 7]);
    apply_black_level(&mut raw);
    assert!(raw.data.is_empty());
}

#[test]
fn black_level_never_raises_a_sample() {
    let data: Vec<u16> = vec![0, 7, 65535, 300, 12, 9000];
    let mut raw = make_raw(3, 2, data.clone(), [10, 0, 65535, 5]);
    apply_black_level(&mut raw);
    for (after, before) in raw.data.iter().zip(data.iter()) {
        assert!(after <= before);
    }
    assert_eq!(raw.data, vec![0, 7, 65525, 0, 7, 0]);
}

#[test]
fn zero_black_levels_leave_any_shape_alone() {
    // With every level zero nothing is read, so even a zero width is fine.
    let mut raw = make_raw(0, 0, vec![1, 2, 3], [0, 0, 0, 0]);
    apply_black_level(&mut raw);
    assert_eq!(raw.data, vec![1, 2, 3]);
}
