//! Tone mapping and gamma correction.
//!
//! Gamma correction, `ToneCurve` tags and global tone mapping for HDR content
//! work on floating-point values and live outside this library.

use vstd::prelude::*;

verus! {

/// Tone mapping pipeline step (lookup tables and gamma values to come).
pub struct ToneMapper {}

} // verus!
