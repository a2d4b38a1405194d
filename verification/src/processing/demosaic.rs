//! Demosaicing: interpolating a full RGB image from Bayer CFA samples.

use crate::image::{CfaPattern, RawImage, RgbImage};
use vstd::arithmetic::div_mod::{
    lemma_div_pos_is_pos, lemma_fundamental_div_mod, lemma_fundamental_div_mod_converse,
    lemma_multiply_divide_lt,
};
use vstd::prelude::*;

verus! {

/// Error type for demosaicing operations.
#[derive(Debug, Clone)]
pub enum DemosaicError {
    /// Output buffer size does not match expected size
    BufferSizeMismatch {
        /// Expected buffer size in u16 elements
        expected: usize,
        /// Actual buffer size provided
        actual: usize,
    },
    /// Invalid image dimensions
    InvalidDimensions,
}

/// The decimal digits of `n`, most significant first, without leading zeros.
pub open spec fn decimal(n: nat) -> Seq<char>
    decreases n,
{
    if n < 10 {
        seq![(48 + n) as char]
    } else {
        decimal(n / 10).push((48 + n % 10) as char)
    }
}

/// The one-character string of decimal digit `d`.
fn digit_str(d: usize) -> (r: &'static str)
    requires
        d < 10,
    ensures
        r@ == seq![(48 + d) as char],
{
    proof {
        reveal_strlit("0");
        reveal_strlit("1");
        reveal_strlit("2");
        reveal_strlit("3");
        reveal_strlit("4");
        reveal_strlit("5");
        reveal_strlit("6");
        reveal_strlit("7");
        reveal_strlit("8");
        reveal_strlit("9");
    }
    if d == 0 {
        "0"
    } else if d == 1 {
        "1"
    } else if d == 2 {
        "2"
    } else if d == 3 {
        "3"
    } else if d == 4 {
        "4"
    } else if d == 5 {
        "5"
    } else if d == 6 {
        "6"
    } else if d == 7 {
        "7"
    } else if d == 8 {
        "8"
    } else {
        "9"
    }
}

/// Appends the decimal digits of `n`.
fn push_decimal(s: &mut String, n: usize)
    ensures
        final(s)@ == old(s)@ + decimal(n as nat),
    decreases n,
{
    if n >= 10 {
        push_decimal(s, n / 10);
    }
    s.append(digit_str(n % 10));
    proof {
        if n >= 10 {
            assert(decimal(n as nat) == decimal((n / 10) as nat).push((48 + n % 10) as char));
        }
        assert(s@ =~= old(s)@ + decimal(n as nat));
    }
}

/// The size-mismatch message, with both sizes in decimal.
fn format_size_mismatch(expected: usize, actual: usize) -> (s: String)
    ensures
        s@ == "buffer size mismatch: expected "@ + decimal(expected as nat) + " elements, got "@
            + decimal(actual as nat),
{
    let mut s = String::from_str("buffer size mismatch: expected ");
    push_decimal(&mut s, expected);
    s.append(" elements, got ");
    push_decimal(&mut s, actual);
    s
}

impl DemosaicError {
    /// The human-readable description of the error.
    pub fn message(&self) -> (s: String)
        ensures
            match self {
                DemosaicError::BufferSizeMismatch { expected, actual } => s@
                    == "buffer size mismatch: expected "@ + decimal(*expected as nat)
                    + " elements, got "@ + decimal(*actual as nat),
                DemosaicError::InvalidDimensions => s@ == "invalid image dimensions"@,
            },
    {
        match self {
            DemosaicError::BufferSizeMismatch { expected, actual } => format_size_mismatch(
                *expected,
                *actual,
            ),
            DemosaicError::InvalidDimensions => String::from_str("invalid image dimensions"),
        }
    }
}

// ── The model ───────────────────────────────────────────────────────────────

/// The colour a CFA site records.
pub enum CfaColor {
    Red,
    Green,
    Blue,
}

/// The colour recorded at `(x, y)` under `pattern` (the 2x2 tile repeats).
pub open spec fn cfa_color(pattern: CfaPattern, x: int, y: int) -> CfaColor {
    let even_x = x % 2 == 0;
    let even_y = y % 2 == 0;
    match pattern {
        CfaPattern::Rggb => if even_x && even_y {
            CfaColor::Red
        } else if !even_x && !even_y {
            CfaColor::Blue
        } else {
            CfaColor::Green
        },
        CfaPattern::Grbg => if !even_x && even_y {
            CfaColor::Red
        } else if even_x && !even_y {
            CfaColor::Blue
        } else {
            CfaColor::Green
        },
        CfaPattern::Gbrg => if even_x && !even_y {
            CfaColor::Red
        } else if !even_x && even_y {
            CfaColor::Blue
        } else {
            CfaColor::Green
        },
        CfaPattern::Bggr => if !even_x && !even_y {
            CfaColor::Red
        } else if even_x && even_y {
            CfaColor::Blue
        } else {
            CfaColor::Green
        },
    }
}

/// The sample at `(x, y)`, or 0 outside the sensor.
pub open spec fn raw_sample(raw: &RawImage, x: int, y: int) -> u16 {
    if 0 <= x < raw.size.width && 0 <= y < raw.size.height {
        raw.data@[y * raw.size.width + x]
    } else {
        0
    }
}

/// The previous coordinate, clamped at 0 (so the edge pixel is its own neighbour).
pub open spec fn before(v: int) -> int {
    if v == 0 {
        0
    } else {
        v - 1
    }
}

pub open spec fn mean2(a: u16, b: u16) -> u16 {
    ((a + b) / 2) as u16
}

pub open spec fn mean4(a: u16, b: u16, c: u16, d: u16) -> u16 {
    ((a + b + c + d) / 4) as u16
}

/// Bilinear interpolation at `(x, y)`: the recorded channel is kept; at a red
/// or blue site green is the mean of the four edge neighbours and the
/// opposite colour the mean of the four diagonal ones; at a green site the
/// colour of the horizontal neighbours is their mean, the other colour the
/// mean of the vertical neighbours.
pub open spec fn bilinear_rgb(raw: &RawImage, x: int, y: int) -> (u16, u16, u16) {
    let here = raw_sample(raw, x, y);
    let left = raw_sample(raw, before(x), y);
    let right = raw_sample(raw, x + 1, y);
    let up = raw_sample(raw, x, before(y));
    let down = raw_sample(raw, x, y + 1);
    let edges = mean4(up, down, left, right);
    let diagonals = mean4(
        raw_sample(raw, before(x), before(y)),
        raw_sample(raw, x + 1, before(y)),
        raw_sample(raw, before(x), y + 1),
        raw_sample(raw, x + 1, y + 1),
    );
    match cfa_color(raw.cfa_pattern, x, y) {
        CfaColor::Red => (here, edges, diagonals),
        CfaColor::Blue => (diagonals, edges, here),
        CfaColor::Green => if cfa_color(raw.cfa_pattern, x + 1, y) is Red {
            (mean2(left, right), here, mean2(up, down))
        } else {
            (mean2(up, down), here, mean2(left, right))
        },
    }
}

pub open spec fn channel(rgb: (u16, u16, u16), c: int) -> u16 {
    if c == 0 {
        rgb.0
    } else if c == 1 {
        rgb.1
    } else {
        rgb.2
    }
}

/// Width of the active area.
pub open spec fn active_width(raw: &RawImage) -> int {
    raw.active_area.size.width as int
}

/// Height of the active area.
pub open spec fn active_height(raw: &RawImage) -> int {
    raw.active_area.size.height as int
}

/// Number of `u16` values in the RGB image of the active area.
pub open spec fn rgb_len(raw: &RawImage) -> int {
    active_width(raw) * active_height(raw) * 3
}

/// `out` holds, row-major, the bilinear RGB of every active-area pixel.
pub open spec fn is_bilinear_output(raw: &RawImage, out: Seq<u16>) -> bool {
    &&& out.len() == rgb_len(raw)
    &&& forall|py: int, px: int, c: int|
        0 <= py < active_height(raw) && 0 <= px < active_width(raw) && 0 <= c < 3 ==> #[trigger] out[(py
            * active_width(raw) + px) * 3 + c] == channel(
            bilinear_rgb(raw, raw.active_area.origin.x + px, raw.active_area.origin.y + py),
            c,
        )
}

/// The RGB channel a CFA colour is recorded in.
pub open spec fn color_channel(c: CfaColor) -> int {
    match c {
        CfaColor::Red => 0,
        CfaColor::Green => 1,
        CfaColor::Blue => 2,
    }
}

/// Bilinear demosaicing keeps every pixel's recorded sample, unchanged, in the
/// channel its CFA site records.
pub proof fn lemma_bilinear_keeps_recorded_sample(raw: &RawImage, out: Seq<u16>, py: int, px: int)
    requires
        is_bilinear_output(raw, out),
        0 <= py < active_height(raw),
        0 <= px < active_width(raw),
    ensures
        ({
            let x = raw.active_area.origin.x + px;
            let y = raw.active_area.origin.y + py;
            out[(py * active_width(raw) + px) * 3 + color_channel(cfa_color(raw.cfa_pattern, x, y))]
                == raw_sample(raw, x, y)
        }),
{
    let x = raw.active_area.origin.x + px;
    let y = raw.active_area.origin.y + py;
    let c = color_channel(cfa_color(raw.cfa_pattern, x, y));
    assert(out[(py * active_width(raw) + px) * 3 + c] == channel(bilinear_rgb(raw, x, y), c));
}

/// Row `y` holds red sites under `pattern`.
pub open spec fn row_has_red(pattern: CfaPattern, y: int) -> bool {
    match pattern {
        CfaPattern::Rggb | CfaPattern::Grbg => y % 2 == 0,
        CfaPattern::Gbrg | CfaPattern::Bggr => y % 2 == 1,
    }
}

/// What bilinear demosaicing computes at `(x, y)`, spelled out over the raw
/// samples. With `l`, `r`, `u`, `d` the left, right, upper and lower
/// neighbours (the left and upper ones clamped at 0) and `c` the sample itself:
/// at a red site red is `c`, green the mean of the four edge neighbours and
/// blue the mean of the four diagonal ones; at a blue site the same with red
/// and blue exchanged; at a green site in a row holding red sites red is the
/// mean of `l` and `r` and blue that of `u` and `d`, and the other way round in
/// the other rows. The sites follow the 2x2 tile of each pattern, named by its
/// top row then its bottom row.
pub proof fn lemma_bilinear_sites(raw: &RawImage, x: int, y: int)
    requires
        0 <= x,
        0 <= y,
    ensures
        ({
            let xl = if x == 0 { 0 } else { x - 1 };
            let yu = if y == 0 { 0 } else { y - 1 };
            let c = raw_sample(raw, x, y);
            let l = raw_sample(raw, xl, y);
            let r = raw_sample(raw, x + 1, y);
            let u = raw_sample(raw, x, yu);
            let d = raw_sample(raw, x, y + 1);
            let edges = ((u + d + l + r) / 4) as u16;
            let diag = ((raw_sample(raw, xl, yu) + raw_sample(raw, x + 1, yu) + raw_sample(raw, xl, y + 1)
                + raw_sample(raw, x + 1, y + 1)) / 4) as u16;
            let h = ((l + r) / 2) as u16;
            let v = ((u + d) / 2) as u16;
            let ex = x % 2 == 0;
            let ey = y % 2 == 0;
            let (red_site, blue_site, red_row) = match raw.cfa_pattern {
                CfaPattern::Rggb => (ex && ey, !ex && !ey, ey),
                CfaPattern::Grbg => (!ex && ey, ex && !ey, ey),
                CfaPattern::Gbrg => (ex && !ey, !ex && ey, !ey),
                CfaPattern::Bggr => (!ex && !ey, ex && ey, !ey),
            };
            &&& red_site ==> bilinear_rgb(raw, x, y) == (c, edges, diag)
            &&& blue_site ==> bilinear_rgb(raw, x, y) == (diag, edges, c)
            &&& (!red_site && !blue_site && red_row) ==> bilinear_rgb(raw, x, y) == (h, c, v)
            &&& (!red_site && !blue_site && !red_row) ==> bilinear_rgb(raw, x, y) == (v, c, h)
        }),
{
    assert((x + 1) % 2 == 0 <==> x % 2 == 1);
}

/// At a green site the red value is the mean of the horizontal neighbours
/// exactly when the row holds red sites, and the blue value is the mean of
/// the other pair.
pub proof fn lemma_bilinear_green_site(raw: &RawImage, x: int, y: int)
    requires
        0 <= x,
        0 <= y,
        cfa_color(raw.cfa_pattern, x, y) is Green,
    ensures
        ({
            let h = mean2(raw_sample(raw, before(x), y), raw_sample(raw, x + 1, y));
            let v = mean2(raw_sample(raw, x, before(y)), raw_sample(raw, x, y + 1));
            bilinear_rgb(raw, x, y) == if row_has_red(raw.cfa_pattern, y) {
                (h, raw_sample(raw, x, y), v)
            } else {
                (v, raw_sample(raw, x, y), h)
            }
        }),
{
    assert((x + 1) % 2 == 0 <==> x % 2 == 1);
}

/// The bilinear value at a site depends only on the pattern and the samples of
/// the 3x3 neighbourhood (clamped at the top and left edges).
pub proof fn lemma_bilinear_neighbourhood(a: &RawImage, b: &RawImage, x: int, y: int)
    requires
        a.cfa_pattern == b.cfa_pattern,
        forall|i: int, j: int|
            (i == before(x) || i == x || i == x + 1) && (j == before(y) || j == y || j == y + 1)
                ==> #[trigger] raw_sample(a, i, j) == raw_sample(b, i, j),
    ensures
        bilinear_rgb(a, x, y) == bilinear_rgb(b, x, y),
{
    assert(raw_sample(a, x, y) == raw_sample(b, x, y));
    assert(raw_sample(a, before(x), y) == raw_sample(b, before(x), y));
    assert(raw_sample(a, x + 1, y) == raw_sample(b, x + 1, y));
    assert(raw_sample(a, x, before(y)) == raw_sample(b, x, before(y)));
    assert(raw_sample(a, x, y + 1) == raw_sample(b, x, y + 1));
    assert(raw_sample(a, before(x), before(y)) == raw_sample(b, before(x), before(y)));
    assert(raw_sample(a, x + 1, before(y)) == raw_sample(b, x + 1, before(y)));
    assert(raw_sample(a, before(x), y + 1) == raw_sample(b, before(x), y + 1));
    assert(raw_sample(a, x + 1, y + 1) == raw_sample(b, x + 1, y + 1));
}

/// GRBG is RGGB moved one column: on an image whose samples are those of a
/// GRBG image one column to the right, RGGB interpolation at `x - 1` gives the
/// GRBG result at `x` (away from the left edge, where clamping differs).
pub proof fn lemma_bilinear_grbg_is_shifted_rggb(g: &RawImage, r: &RawImage, x: int, y: int)
    requires
        g.cfa_pattern == CfaPattern::Grbg,
        r.cfa_pattern == CfaPattern::Rggb,
        2 <= x,
        0 <= y,
        forall|i: int, j: int| 0 <= i ==> #[trigger] raw_sample(r, i, j) == raw_sample(g, i + 1, j),
    ensures
        bilinear_rgb(g, x, y) == bilinear_rgb(r, x - 1, y),
{
    assert((x - 1) % 2 == 0 <==> x % 2 == 1);
    assert(x % 2 == 0 <==> (x + 1) % 2 == 1);
    let yb = before(y);
    assert(raw_sample(r, x - 1, y) == raw_sample(g, x, y));
    assert(raw_sample(r, x - 2, y) == raw_sample(g, x - 1, y));
    assert(raw_sample(r, x, y) == raw_sample(g, x + 1, y));
    assert(raw_sample(r, x - 1, yb) == raw_sample(g, x, yb));
    assert(raw_sample(r, x - 1, y + 1) == raw_sample(g, x, y + 1));
    assert(raw_sample(r, x - 2, yb) == raw_sample(g, x - 1, yb));
    assert(raw_sample(r, x, yb) == raw_sample(g, x + 1, yb));
    assert(raw_sample(r, x - 2, y + 1) == raw_sample(g, x - 1, y + 1));
    assert(raw_sample(r, x, y + 1) == raw_sample(g, x + 1, y + 1));
    assert(before(x - 1) == x - 2);
    assert(before(x) == x - 1);
}

/// The bilinear RGB image of the active area, row-major.
pub open spec fn bilinear_image(raw: &RawImage) -> Seq<u16> {
    let w = active_width(raw);
    Seq::new(
        rgb_len(raw) as nat,
        |i: int|
            channel(
                bilinear_rgb(
                    raw,
                    raw.active_area.origin.x + (i / 3) % w,
                    raw.active_area.origin.y + (i / 3) / w,
                ),
                i % 3,
            ),
    )
}

/// `bilinear_image` is a bilinear output.
pub proof fn lemma_bilinear_image(raw: &RawImage)
    ensures
        is_bilinear_output(raw, bilinear_image(raw)),
{
    let w = active_width(raw);
    let h = active_height(raw);
    let out = bilinear_image(raw);
    assert(w * h * 3 >= 0) by (nonlinear_arith)
        requires
            w >= 0,
            h >= 0,
    ;
    assert forall|py: int, px: int, c: int|
        0 <= py < h && 0 <= px < w && 0 <= c < 3 implies #[trigger] out[(py * w + px) * 3 + c] == channel(
            bilinear_rgb(raw, raw.active_area.origin.x + px, raw.active_area.origin.y + py),
            c,
        ) by {
        let pix = py * w + px;
        let i = pix * 3 + c;
        assert(0 <= pix < w * h) by (nonlinear_arith)
            requires
                0 <= py < h,
                0 <= px < w,
                pix == py * w + px,
        ;
        assert(0 <= i < w * h * 3) by (nonlinear_arith)
            requires
                0 <= pix < w * h,
                0 <= c < 3,
                i == pix * 3 + c,
        ;
        lemma_fundamental_div_mod_converse(i, 3, pix, c);
        lemma_fundamental_div_mod_converse(pix, w, py, px);
    }
}

/// An image has one bilinear output: `demosaic` and a successful
/// `demosaic_into` give the same buffer.
pub proof fn lemma_bilinear_output_unique(raw: &RawImage, a: Seq<u16>, b: Seq<u16>)
    requires
        is_bilinear_output(raw, a),
        is_bilinear_output(raw, b),
    ensures
        a == b,
{
    let w = active_width(raw);
    let h = active_height(raw);
    assert forall|i: int| 0 <= i < a.len() implies a[i] == b[i] by {
        let pix = i / 3;
        let c = i % 3;
        lemma_fundamental_div_mod(i, 3);
        assert(w * h * 3 > 0);
        assert(w > 0 && h > 0) by (nonlinear_arith)
            requires
                w * h * 3 > 0,
                w >= 0,
                h >= 0,
        ;
        assert(pix < w * h) by {
            lemma_multiply_divide_lt(i, 3, w * h);
        }
        lemma_div_pos_is_pos(i, 3);
        let py = pix / w;
        let px = pix % w;
        lemma_fundamental_div_mod(pix, w);
        lemma_div_pos_is_pos(pix, w);
        assert(py < h) by {
            lemma_multiply_divide_lt(pix, w, h);
        }
        assert(i == (py * w + px) * 3 + c) by (nonlinear_arith)
            requires
                i == 3 * pix + c,
                pix == w * py + px,
        ;
        assert(a[(py * w + px) * 3 + c] == b[(py * w + px) * 3 + c]);
    }
    assert(a =~= b);
}

/// What demosaicing asks of the raw image: a full frame of samples, and an
/// active area whose coordinates (and their right/lower neighbours) fit `u32`.
pub open spec fn demosaic_ready(raw: &RawImage) -> bool {
    &&& raw.data@.len() >= raw.size.width * raw.size.height
    &&& raw.active_area.origin.x + raw.active_area.size.width <= u32::MAX
    &&& raw.active_area.origin.y + raw.active_area.size.height <= u32::MAX
}

// ── Sampling ────────────────────────────────────────────────────────────────

/// The sample at `(x, y)`, or 0 outside the sensor.
fn get_raw(raw: &RawImage, x: u32, y: u32) -> (v: u16)
    requires
        raw.data@.len() >= raw.size.width * raw.size.height,
    ensures
        v == raw_sample(raw, x as int, y as int),
{
    let n = raw.data.len();
    if x < raw.size.width && y < raw.size.height {
        proof {
            assert(y * raw.size.width + x < raw.size.width * raw.size.height) by (nonlinear_arith)
                requires
                    x < raw.size.width,
                    y < raw.size.height,
            ;
            assert(y * raw.size.width <= y * raw.size.width + x);
        }
        raw.data[(y as usize) * (raw.size.width as usize) + (x as usize)]
    } else {
        0
    }
}

#[inline(always)]
fn avg2(a: u16, b: u16) -> (r: u16)
    ensures
        r == mean2(a, b),
{
    ((a as u32 + b as u32) / 2) as u16
}

#[inline(always)]
fn avg4(a: u16, b: u16, c: u16, d: u16) -> (r: u16)
    ensures
        r == mean4(a, b, c, d),
{
    ((a as u32 + b as u32 + c as u32 + d as u32) / 4) as u16
}

/// Interpolates a single pixel using bilinear interpolation.
pub fn demosaic_pixel_bilinear(x: u32, y: u32, pattern: CfaPattern, raw: &RawImage) -> (rgb: (
    u16,
    u16,
    u16,
))
    requires
        raw.data@.len() >= raw.size.width * raw.size.height,
        x < u32::MAX,
        y < u32::MAX,
        pattern == raw.cfa_pattern,
    ensures
        rgb == bilinear_rgb(raw, x as int, y as int),
{
    // Determine the color of the current pixel location
    let (is_red, is_blue) = match pattern {
        CfaPattern::Rggb => ((x % 2 == 0) && (y % 2 == 0), (x % 2 == 1) && (y % 2 == 1)),
        CfaPattern::Grbg => ((x % 2 == 1) && (y % 2 == 0), (x % 2 == 0) && (y % 2 == 1)),
        CfaPattern::Gbrg => ((x % 2 == 0) && (y % 2 == 1), (x % 2 == 1) && (y % 2 == 0)),
        CfaPattern::Bggr => ((x % 2 == 1) && (y % 2 == 1), (x % 2 == 0) && (y % 2 == 0)),
    };

    // Green is true if it's neither red nor blue
    let is_green = !is_red && !is_blue;

    let left = get_raw(raw, x.saturating_sub(1), y);
    let right = get_raw(raw, x + 1, y);
    let up = get_raw(raw, x, y.saturating_sub(1));
    let down = get_raw(raw, x, y + 1);

    if is_green {
        // Current pixel is green: red and blue come from the horizontal
        // neighbours for one, the vertical neighbours for the other.
        let g = get_raw(raw, x, y);
        let (r, b) = match pattern {
            CfaPattern::Rggb | CfaPattern::Bggr => {
                if y % 2 == 0 {
                    if matches!(pattern, CfaPattern::Rggb) {
                        // Row R G R G: horizontal neighbours are red.
                        (avg2(left, right), avg2(up, down))
                    } else {
                        // Row B G B G: horizontal neighbours are blue.
                        (avg2(up, down), avg2(left, right))
                    }
                } else {
                    if matches!(pattern, CfaPattern::Rggb) {
                        // Row G B G B.
                        (avg2(up, down), avg2(left, right))
                    } else {
                        // Row G R G R.
                        (avg2(left, right), avg2(up, down))
                    }
                }
            },
            CfaPattern::Grbg | CfaPattern::Gbrg => {
                if y % 2 == 0 {
                    if matches!(pattern, CfaPattern::Grbg) {
                        // Row G R G R.
                        (avg2(left, right), avg2(up, down))
                    } else {
                        // Row G B G B.
                        (avg2(up, down), avg2(left, right))
                    }
                } else {
                    if matches!(pattern, CfaPattern::Grbg) {
                        // Row B G B G.
                        (avg2(up, down), avg2(left, right))
                    } else {
                        // Row R G R G.
                        (avg2(left, right), avg2(up, down))
                    }
                }
            },
        };
        (r, g, b)
    } else {
        // Red or blue: green from the four edge neighbours, the opposite
        // colour from the four diagonal neighbours.
        let here = get_raw(raw, x, y);
        let g = avg4(up, down, left, right);
        let diag = avg4(
            get_raw(raw, x.saturating_sub(1), y.saturating_sub(1)),
            get_raw(raw, x + 1, y.saturating_sub(1)),
            get_raw(raw, x.saturating_sub(1), y + 1),
            get_raw(raw, x + 1, y + 1),
        );
        if is_red {
            (here, g, diag)
        } else {
            (diag, g, here)
        }
    }
}

/// Two row-major positions in rows of `w` are equal only at the same pixel.
proof fn lemma_row_major_unique(qy: int, qx: int, py: int, px: int, w: int)
    requires
        0 <= qx < w,
        0 <= px < w,
        0 <= qy,
        0 <= py,
        qy * w + qx == py * w + px,
    ensures
        qy == py,
        qx == px,
{
    if qy < py {
        assert(qy * w + w <= py * w) by (nonlinear_arith)
            requires
                qy < py,
                w > 0,
        ;
    } else if py < qy {
        assert(py * w + w <= qy * w) by (nonlinear_arith)
            requires
                py < qy,
                w > 0,
        ;
    }
}

/// Fills `output` with the bilinear RGB of the active area; see `is_bilinear_output`.
fn fill_bilinear(raw: &RawImage, output: &mut [u16])
    requires
        demosaic_ready(raw),
        old(output)@.len() == rgb_len(raw),
    ensures
        is_bilinear_output(raw, final(output)@),
{
    let width = raw.active_area.size.width;
    let height = raw.active_area.size.height;
    let x_offset = raw.active_area.origin.x;
    let y_offset = raw.active_area.origin.y;
    let ghost w = width as int;
    let ghost h = height as int;
    let ghost total = w * h;
    let mut k: usize = 0;
    let mut y: u32 = 0;
    let mut x: u32 = 0;
    let n = output.len();
    if width == 0 {
        assert(total == 0) by (nonlinear_arith)
            requires
                w == 0,
                total == w * h,
        ;
        return;
    }
    while y < height
        invariant
            demosaic_ready(raw),
            width == raw.active_area.size.width,
            height == raw.active_area.size.height,
            x_offset == raw.active_area.origin.x,
            y_offset == raw.active_area.origin.y,
            w == width,
            h == height,
            total == w * h,
            w > 0,
            x < width,
            y <= height,
            k == y * w + x,
            y == height ==> x == 0,
            output@.len() == rgb_len(raw),
            output@.len() == total * 3,
            n == output@.len(),
            forall|qy: int, qx: int, c: int|
                0 <= qy && 0 <= qx < w && 0 <= c < 3 && qy * w + qx < k ==> #[trigger] output@[(qy
                    * w + qx) * 3 + c] == channel(
                    bilinear_rgb(raw, x_offset + qx, y_offset + qy),
                    c,
                ),
        decreases height - y, width - x,
    {
        proof {
            assert(k < total) by (nonlinear_arith)
                requires
                    k == y * w + x,
                    x < w,
                    y < h,
                    total == w * h,
            ;
        }
        let abs_x = x + x_offset;
        let abs_y = y + y_offset;
        let (r, g, b) = demosaic_pixel_bilinear(abs_x, abs_y, raw.cfa_pattern, raw);
        let idx = k * 3;
        output[idx] = r;
        output[idx + 1] = g;
        output[idx + 2] = b;
        proof {
            assert forall|qy: int, qx: int, c: int|
                0 <= qy && 0 <= qx < w && 0 <= c < 3 && qy * w + qx < k + 1 implies #[trigger] output@[(
                qy * w + qx) * 3 + c] == channel(
                bilinear_rgb(raw, x_offset + qx, y_offset + qy),
                c,
            ) by {
                if qy * w + qx == k {
                    lemma_row_major_unique(qy, qx, y as int, x as int, w);
                }
            }
        }
        let ghost yo = y as int;
        k = k + 1;
        if x + 1 < width {
            x = x + 1;
        } else {
            x = 0;
            y = y + 1;
            assert(k == y * w + x) by (nonlinear_arith)
                requires
                    k == yo * w + w,
                    y == yo + 1,
                    x == 0,
            ;
        }
    }
    proof {
        assert forall|py: int, px: int, c: int|
            0 <= py < h && 0 <= px < w && 0 <= c < 3 implies #[trigger] output@[(py * w + px) * 3
            + c] == channel(
            bilinear_rgb(raw, raw.active_area.origin.x + px, raw.active_area.origin.y + py),
            c,
        ) by {
            assert(py * w + px < h * w) by (nonlinear_arith)
                requires
                    py < h,
                    0 <= px < w,
                    0 <= py,
            ;
        }
    }
}


// ── The demosaicing interface ───────────────────────────────────────────────

/// The `u16` count an RGB buffer for `raw`'s active area must have.
fn expected_len(raw: &RawImage) -> (r: Option<usize>)
    ensures
        match r {
            Some(n) => n == rgb_len(raw),
            None => rgb_len(raw) > usize::MAX,
        },
{
    let w = raw.active_area.size.width as usize;
    let h = raw.active_area.size.height as usize;
    match w.checked_mul(h) {
        Some(wh) => wh.checked_mul(3),
        None => {
            proof {
                assert(w * h * 3 >= w * h) by (nonlinear_arith)
                    requires
                        w * h >= 0,
                ;
            }
            None
        },
    }
}

/// Trait for demosaicing algorithms.
///
/// Implementors override [`demosaic_into`](Self::demosaic_into) as the primary method.
/// The [`demosaic`](Self::demosaic) method provides a convenience wrapper that allocates output.
pub trait DemosaicMethod {
    /// The RGB image, row-major, that this method computes for `raw`'s active area.
    spec fn demosaic_spec(&self, raw: &RawImage) -> Seq<u16>;

    /// Demosaic a raw image into a pre-allocated RGB buffer.
    ///
    /// The output buffer must have exactly `width * height * 3` elements
    /// (interleaved R, G, B, R, G, B, ...) for the active area.
    ///
    /// # Errors
    /// Returns [`DemosaicError::BufferSizeMismatch`] if buffer size is incorrect,
    /// and [`DemosaicError::InvalidDimensions`] if that size overflows `usize`.
    fn demosaic_into(&self, raw: &RawImage, output: &mut [u16]) -> (r: Result<(), DemosaicError>)
        requires
            demosaic_ready(raw),
        ensures
            final(output)@.len() == old(output)@.len(),
            rgb_len(raw) > usize::MAX ==> r == Err::<(), DemosaicError>(
                DemosaicError::InvalidDimensions,
            ),
            rgb_len(raw) <= usize::MAX && old(output)@.len() != rgb_len(raw) ==> r == Err::<
                (),
                DemosaicError,
            >(
                DemosaicError::BufferSizeMismatch {
                    expected: rgb_len(raw) as usize,
                    actual: old(output)@.len() as usize,
                },
            ),
            old(output)@.len() == rgb_len(raw) ==> r is Ok,
            r is Err ==> final(output)@ == old(output)@,
            r is Ok ==> final(output)@ == self.demosaic_spec(raw),
    ;

    /// Demosaic a raw image into a newly allocated RGB image of the active area.
    ///
    /// This is a convenience wrapper that allocates the output buffer
    /// and calls [`demosaic_into`](Self::demosaic_into).
    fn demosaic(&self, raw: &RawImage) -> (img: RgbImage)
        requires
            demosaic_ready(raw),
            rgb_len(raw) <= usize::MAX,
        ensures
            img.width == raw.active_area.size.width,
            img.height == raw.active_area.size.height,
            img.data@.len() == rgb_len(raw),
            img.data@ == self.demosaic_spec(raw),
    {
        let width = raw.active_area.size.width;
        let height = raw.active_area.size.height;
        let n = (width as usize) * (height as usize) * 3;
        let mut data = vec![0u16; n];
        match self.demosaic_into(raw, data.as_mut_slice()) {
            Ok(()) => RgbImage { width, height, data },
            Err(_) => {
                proof {
                    assert(false);
                }
                vstd::pervasive::unreached()
            },
        }
    }
}

/// Bilinear interpolation demosaicing algorithm; see `bilinear_rgb`.
pub struct Bilinear;

impl DemosaicMethod for Bilinear {
    open spec fn demosaic_spec(&self, raw: &RawImage) -> Seq<u16> {
        bilinear_image(raw)
    }

    fn demosaic_into(&self, raw: &RawImage, output: &mut [u16]) -> (r: Result<(), DemosaicError>)
        ensures
            r is Ok ==> is_bilinear_output(raw, final(output)@),
    {
        let actual = output.len();
        let expected = match expected_len(raw) {
            Some(n) => n,
            None => {
                return Err(DemosaicError::InvalidDimensions);
            },
        };
        if actual != expected {
            return Err(DemosaicError::BufferSizeMismatch { expected, actual });
        }
        fill_bilinear(raw, output);
        proof {
            lemma_bilinear_image(raw);
            lemma_bilinear_output_unique(raw, output@, bilinear_image(raw));
        }
        Ok(())
    }

    fn demosaic(&self, raw: &RawImage) -> (img: RgbImage)
        ensures
            is_bilinear_output(raw, img.data@),
    {
        let width = raw.active_area.size.width;
        let height = raw.active_area.size.height;
        let n = (width as usize) * (height as usize) * 3;
        let mut data = vec![0u16; n];
        match self.demosaic_into(raw, data.as_mut_slice()) {
            Ok(()) => RgbImage { width, height, data },
            Err(_) => {
                proof {
                    assert(false);
                }
                vstd::pervasive::unreached()
            },
        }
    }
}

/// The image `Bilinear` computes holds, row-major over the active area, three
/// values per pixel in the order red, green, blue, each the bilinear value at
/// the pixel's sensor position (the active area's origin plus its offset).
pub proof fn lemma_bilinear_output_layout(raw: &RawImage, py: int, px: int)
    requires
        0 <= py < raw.active_area.size.height,
        0 <= px < raw.active_area.size.width,
    ensures
        ({
            let w = raw.active_area.size.width as int;
            let out = Bilinear.demosaic_spec(raw);
            let i = (py * w + px) * 3;
            let rgb = bilinear_rgb(raw, raw.active_area.origin.x + px, raw.active_area.origin.y + py);
            &&& out.len() == w * raw.active_area.size.height * 3
            &&& out[i] == rgb.0
            &&& out[i + 1] == rgb.1
            &&& out[i + 2] == rgb.2
        }),
{
    lemma_bilinear_image(raw);
    let out = bilinear_image(raw);
    let w = active_width(raw);
    assert(out[(py * w + px) * 3 + 0] == channel(
        bilinear_rgb(raw, raw.active_area.origin.x + px, raw.active_area.origin.y + py),
        0,
    ));
    assert(out[(py * w + px) * 3 + 1] == channel(
        bilinear_rgb(raw, raw.active_area.origin.x + px, raw.active_area.origin.y + py),
        1,
    ));
    assert(out[(py * w + px) * 3 + 2] == channel(
        bilinear_rgb(raw, raw.active_area.origin.x + px, raw.active_area.origin.y + py),
        2,
    ));
}

} // verus!
